//! Numbers as text.

use vstd::arithmetic::div_mod::lemma_mod_breakdown;
use vstd::arithmetic::power::{lemma_pow0, lemma_pow1, lemma_pow_adds, pow};
use vstd::prelude::*;
use vstd::string::*;

verus! {

/// The digit that stands for a number below 16.
pub open spec fn digit(d: int) -> char {
    "0123456789ABCDEF"@[d]
}

/// A number in decimal digits, without leading zeros.
pub open spec fn decimal(n: nat) -> Seq<char>
    decreases n,
{
    if n < 10 {
        seq![digit(n as int)]
    } else {
        decimal(n / 10).push(digit((n % 10) as int))
    }
}

/// The last `width` hexadecimal digits of a number.
pub open spec fn hexadecimal(n: nat, width: nat) -> Seq<char>
    decreases width,
{
    if width == 0 {
        Seq::empty()
    } else {
        hexadecimal(n / 16, (width - 1) as nat).push(digit((n % 16) as int))
    }
}

/// What is put in for a text of `len` characters to take up `width` of them.
pub open spec fn padding(len: nat, width: nat) -> Seq<char> {
    Seq::new(
        if len < width {
            (width - len) as nat
        } else {
            0
        },
        |i: int| ' ',
    )
}

/// A decimal number with spaces in front of it up to a width.
pub open spec fn right_aligned(n: nat, width: nat) -> Seq<char> {
    padding(decimal(n).len(), width) + decimal(n)
}

/// A decimal number with spaces behind it up to a width.
pub open spec fn left_aligned(n: nat, width: nat) -> Seq<char> {
    decimal(n) + padding(decimal(n).len(), width)
}

/// Appends one digit.
fn push_digit(s: &mut String, d: usize)
    requires
        d < 16,
    ensures
        final(s)@ == old(s)@.push(digit(d as int)),
{
    proof {
        reveal_strlit("0123456789ABCDEF");
    }
    s.append("0123456789ABCDEF".substring_char(d, d + 1));
    assert(s@ =~= old(s)@.push(digit(d as int)));
}

/// Writes a number in decimal digits.
pub fn decimal_of(n: u128) -> (s: String)
    ensures
        s@ == decimal(n as nat),
    decreases n,
{
    let mut s: String = if n < 10 {
        String::new()
    } else {
        decimal_of(n / 10)
    };
    push_digit(&mut s, (n % 10) as usize);
    assert(n < 10 ==> s@ =~= seq![digit(n as int)]);
    s
}

/// Writes the last `width` hexadecimal digits of a number.
pub fn hexadecimal_of(n: u32, width: u32) -> (s: String)
    ensures
        s@ == hexadecimal(n as nat, width as nat),
    decreases width,
{
    if width == 0 {
        return String::new();
    }
    let mut s: String = hexadecimal_of(n / 16, width - 1);
    push_digit(&mut s, (n % 16) as usize);
    s
}

/// Writes what is put in for a text of `len` characters to take up `width` of them.
fn padding_of(len: usize, width: usize) -> (s: String)
    ensures
        s@ == padding(len as nat, width as nat),
{
    let mut s: String = String::new();
    let mut at: usize = len;
    proof {
        reveal_strlit(" ");
    }
    while at < width
        invariant
            len <= at,
            at <= width || at == len,
            s@.len() == at - len,
            forall|i: int| 0 <= i < s@.len() ==> #[trigger] s@[i] == ' ',
            " "@ == seq![' '],
        decreases width - at,
    {
        s.append(" ");
        at = at + 1;
    }
    assert(s@ =~= padding(len as nat, width as nat));
    s
}

/// Writes a decimal number with spaces in front of it up to a width.
pub fn right_aligned_of(n: u128, width: usize) -> (s: String)
    ensures
        s@ == right_aligned(n as nat, width as nat),
{
    let number: String = decimal_of(n);
    let mut s: String = padding_of(number.as_str().unicode_len(), width);
    s.append(number.as_str());
    s
}

/// Writes a decimal number with spaces behind it up to a width.
pub fn left_aligned_of(n: u128, width: usize) -> (s: String)
    ensures
        s@ == left_aligned(n as nat, width as nat),
{
    let mut s: String = decimal_of(n);
    let rest: String = padding_of(s.as_str().unicode_len(), width);
    s.append(rest.as_str());
    s
}

// ---------------------------------------------------------------------------
//  Reading numbers back
// ---------------------------------------------------------------------------

/// The number that a digit stands for: `0` has code 48, and `A` has code 65.
pub open spec fn value_of_digit(c: char) -> int {
    let code = c as int;
    if code >= 65 {
        code - 65 + 10
    } else {
        code - 48
    }
}

/// The number that digits stand for in a base, highest first.
pub open spec fn value_of(digits: Seq<char>, base: int) -> int
    decreases digits.len(),
{
    if digits.len() == 0 {
        0
    } else {
        base * value_of(digits.drop_last(), base) + value_of_digit(digits.last())
    }
}

/// Whether a character is a digit in decimal, or an upper-case one in hexadecimal.
pub open spec fn is_digit(c: char, base: int) -> bool {
    let code = c as int;
    48 <= code <= 57 || (base == 16 && 65 <= code <= 70)
}

proof fn lemma_digit(d: int)
    requires
        0 <= d < 16,
    ensures
        value_of_digit(digit(d)) == d,
        is_digit(digit(d), if d < 10 {
            10
        } else {
            16
        }),
        digit(d) == '0' <==> d == 0,
{
    reveal_strlit("0123456789ABCDEF");
}

/// A number in decimal digits reads back as that number; it is all digits, and has no zero in
/// front unless it is zero.
pub proof fn law_decimal_reads_back(n: nat)
    ensures
        value_of(decimal(n), 10) == n,
        decimal(n).len() > 0,
        decimal(n)[0] == '0' <==> n == 0,
        forall|i: int| 0 <= i < decimal(n).len() ==> is_digit(#[trigger] decimal(n)[i], 10),
    decreases n,
{
    lemma_digit((n % 10) as int);
    let s = decimal(n);
    if n < 10 {
        assert(s.drop_last() =~= Seq::<char>::empty());
        reveal_with_fuel(value_of, 2);
    } else {
        law_decimal_reads_back(n / 10);
        let front = decimal(n / 10);
        assert(s.drop_last() =~= front);
        assert forall|i: int| 0 <= i < s.len() implies is_digit(#[trigger] s[i], 10) by {
            if i < front.len() {
                assert(s[i] == front[i]);
            }
        }
        assert(s[0] == front[0]);
    }
}

/// Hexadecimal digits, as many as there are to be, read back as what so many digits can hold of the
/// number.
pub proof fn law_hexadecimal_reads_back(n: nat, width: nat)
    ensures
        hexadecimal(n, width).len() == width,
        value_of(hexadecimal(n, width), 16) == n % (pow(16, width) as nat),
        pow(16, width) > 0,
        forall|i: int| 0 <= i < width ==> is_digit(#[trigger] hexadecimal(n, width)[i], 16),
    decreases width,
{
    let s = hexadecimal(n, width);
    if width == 0 {
        lemma_pow0(16);
    } else {
        let w = (width - 1) as nat;
        law_hexadecimal_reads_back(n / 16, w);
        lemma_digit((n % 16) as int);
        let front = hexadecimal(n / 16, w);
        assert(s.drop_last() =~= front);
        lemma_pow1(16);
        lemma_pow_adds(16, 1, w);
        let m = pow(16, w);
        lemma_mod_breakdown(n as int, 16, m);
        assert forall|i: int| 0 <= i < width implies is_digit(#[trigger] s[i], 16) by {
            if i < w {
                assert(s[i] == front[i]);
            }
        }
    }
}

/// A number that is aligned stands at its end, with nothing but spaces to fill the width; one that
/// is too long for the width stands as it is.
pub proof fn law_alignment(n: nat, width: nat)
    ensures
        ({
            let digits = decimal(n);
            let (right, left) = (right_aligned(n, width), left_aligned(n, width));
            let taken = if digits.len() < width {
                width
            } else {
                digits.len()
            };
            &&& right.len() == taken && left.len() == taken
            &&& right.skip(taken - digits.len()) == digits
            &&& left.take(digits.len() as int) == digits
            &&& forall|i: int| 0 <= i < taken - digits.len() ==> #[trigger] right[i] == ' '
            &&& forall|i: int| digits.len() <= i < taken ==> #[trigger] left[i] == ' '
        }),
{
    let digits = decimal(n);
    let (right, left) = (right_aligned(n, width), left_aligned(n, width));
    assert(right.skip(right.len() - digits.len()) =~= digits);
    assert(left.take(digits.len() as int) =~= digits);
}

} // verus!
